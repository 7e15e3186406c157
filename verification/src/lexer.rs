//! The tokenizer of the textual trace format.
//!
//! A line is read byte by byte. Blanks separate tokens and are dropped. At
//! every other place the longest token that starts there is taken: `rel`
//! and `req` win over `r`, and a number runs to its last digit. A byte that
//! starts no token, such as any byte outside ASCII, and a number that does
//! not fit a signed 64-bit integer make the whole line fail.
//!
//! A memory location may be written with a field and an index behind it, as
//! in `V1.2[3]`. The longer form is one token too, and the number that it
//! carries is the one directly behind the `V`. Where the field or the index
//! is not complete, the token ends behind the first number, and what
//! follows is read on its own.

use crate::error::{AnalyzerError, LexerError};
use crate::normalizer::{normalize_tokens, normalized};
pub use crate::token::Token;
use vstd::prelude::*;
use vstd::string::*;

verus! {

/// The byte of `|`.
pub const PIPE: u8 = 0x7c;

/// The byte of `.`.
pub const DOT: u8 = 0x2e;

/// The byte of `(`.
pub const LEFT_PARENTHESIS: u8 = 0x28;

/// The byte of `)`.
pub const RIGHT_PARENTHESIS: u8 = 0x29;

/// The byte of `[`.
pub const LEFT_SQUARE_BRACKET: u8 = 0x5b;

/// The byte of `]`.
pub const RIGHT_SQUARE_BRACKET: u8 = 0x5d;

/// The byte of `L`.
pub const UPPER_L: u8 = 0x4c;

/// The byte of `T`.
pub const UPPER_T: u8 = 0x54;

/// The byte of `V`.
pub const UPPER_V: u8 = 0x56;

/// The byte of `a`.
pub const LOWER_A: u8 = 0x61;

/// The byte of `c`.
pub const LOWER_C: u8 = 0x63;

/// The byte of `e`.
pub const LOWER_E: u8 = 0x65;

/// The byte of `f`.
pub const LOWER_F: u8 = 0x66;

/// The byte of `i`.
pub const LOWER_I: u8 = 0x69;

/// The byte of `j`.
pub const LOWER_J: u8 = 0x6a;

/// The byte of `k`.
pub const LOWER_K: u8 = 0x6b;

/// The byte of `l`.
pub const LOWER_L: u8 = 0x6c;

/// The byte of `n`.
pub const LOWER_N: u8 = 0x6e;

/// The byte of `o`.
pub const LOWER_O: u8 = 0x6f;

/// The byte of `q`.
pub const LOWER_Q: u8 = 0x71;

/// The byte of `r`.
pub const LOWER_R: u8 = 0x72;

/// The byte of `w`.
pub const LOWER_W: u8 = 0x77;

/// The byte of `0`.
pub const DIGIT_ZERO: u8 = 0x30;

/// The byte of `9`.
pub const DIGIT_NINE: u8 = 0x39;

/// Space, tab, line feed, form feed and carriage return separate tokens.
pub open spec fn is_blank(byte: u8) -> bool {
    byte == 0x20 || byte == 0x09 || byte == 0x0a || byte == 0x0c || byte == 0x0d
}

/// The ten digits.
pub open spec fn is_digit(byte: u8) -> bool {
    DIGIT_ZERO <= byte <= DIGIT_NINE
}

/// Where the run of digits that starts at `start` ends: the index of the
/// first byte from `start` on that is no digit, or the length of `bytes`.
pub open spec fn digits_end(bytes: Seq<u8>, start: int) -> int
    decreases bytes.len() - start,
{
    if 0 <= start < bytes.len() && is_digit(bytes[start]) {
        digits_end(bytes, start + 1)
    } else {
        start
    }
}

/// The number that the digits `bytes[start..end]` write in decimal.
pub open spec fn number(bytes: Seq<u8>, start: int, end: int) -> int
    decreases end - start,
{
    if end <= start {
        0
    } else {
        number(bytes, start, end - 1) * 10 + (bytes[end - 1] - DIGIT_ZERO)
    }
}

/// Whether the two bytes `first`, `second` stand at `at`.
pub open spec fn two_at(bytes: Seq<u8>, at: int, first: u8, second: u8) -> bool {
    at + 2 <= bytes.len() && bytes[at] == first && bytes[at + 1] == second
}

/// The number behind the letter of an identifier, or a bare number: the
/// digits from `start` on, with the place where they end. `None` where no
/// digit stands at `start`, and where the number is too large.
pub open spec fn number_at(bytes: Seq<u8>, start: int) -> Option<(i64, int)> {
    let end = digits_end(bytes, start);
    let value = number(bytes, start, end);
    if end == start || value > i64::MAX {
        None
    } else {
        Some((value as i64, end))
    }
}

/// Where the field and the index of a memory location end, if they stand
/// at `at`: a dot, digits, an opening square bracket, digits, and a closing
/// square bracket. `None` where anything else stands there.
pub open spec fn field_and_index_end(bytes: Seq<u8>, at: int) -> Option<int> {
    let field_end = digits_end(bytes, at + 1);
    let index_end = digits_end(bytes, field_end + 1);
    if 0 <= at < bytes.len() && bytes[at] == DOT && at + 1 < field_end < bytes.len()
        && bytes[field_end] == LEFT_SQUARE_BRACKET && field_end + 1 < index_end < bytes.len()
        && bytes[index_end] == RIGHT_SQUARE_BRACKET {
        Some(index_end + 1)
    } else {
        None
    }
}

/// The token that starts at `at`, which is the place of a byte that is no
/// blank, and the place where the token ends.
///
/// A memory location carries the number directly behind its `V`, and runs
/// on over a field and an index where they follow that number.
pub open spec fn token_at(bytes: Seq<u8>, at: int) -> Option<(Token, int)> {
    let byte = bytes[at];
    if byte == PIPE {
        Some((Token::Pipe, at + 1))
    } else if byte == LEFT_PARENTHESIS {
        Some((Token::LeftParenthesis, at + 1))
    } else if byte == RIGHT_PARENTHESIS {
        Some((Token::RightParenthesis, at + 1))
    } else if byte == LEFT_SQUARE_BRACKET {
        Some((Token::LeftSquareBracket, at + 1))
    } else if byte == RIGHT_SQUARE_BRACKET {
        Some((Token::RightSquareBracket, at + 1))
    } else if byte == LOWER_W {
        Some((Token::Write, at + 1))
    } else if byte == LOWER_R {
        if two_at(bytes, at + 1, LOWER_E, LOWER_L) {
            Some((Token::Release, at + 3))
        } else if two_at(bytes, at + 1, LOWER_E, LOWER_Q) {
            Some((Token::Request, at + 3))
        } else {
            Some((Token::Read, at + 1))
        }
    } else if byte == LOWER_A {
        if two_at(bytes, at + 1, LOWER_C, LOWER_Q) {
            Some((Token::Acquire, at + 3))
        } else {
            None
        }
    } else if byte == LOWER_F {
        if two_at(bytes, at + 1, LOWER_O, LOWER_R) && at + 3 < bytes.len() && bytes[at + 3]
            == LOWER_K {
            Some((Token::Fork, at + 4))
        } else {
            None
        }
    } else if byte == LOWER_J {
        if two_at(bytes, at + 1, LOWER_O, LOWER_I) && at + 3 < bytes.len() && bytes[at + 3]
            == LOWER_N {
            Some((Token::Join, at + 4))
        } else {
            None
        }
    } else if byte == UPPER_T {
        match number_at(bytes, at + 1) {
            Some((id, end)) => Some((Token::ThreadIdentifier(id), end)),
            None => None,
        }
    } else if byte == UPPER_L {
        match number_at(bytes, at + 1) {
            Some((id, end)) => Some((Token::LockIdentifier(id), end)),
            None => None,
        }
    } else if byte == UPPER_V {
        match number_at(bytes, at + 1) {
            Some((id, end)) => Some(
                (
                    Token::MemoryLocation(id),
                    match field_and_index_end(bytes, end) {
                        Some(longer) => longer,
                        None => end,
                    },
                ),
            ),
            None => None,
        }
    } else if is_digit(byte) {
        match number_at(bytes, at) {
            Some((value, end)) => Some((Token::LineNumber(value), end)),
            None => None,
        }
    } else {
        None
    }
}

/// The tokens of `bytes` from `at` on; `None` where they cannot be split into tokens.
pub open spec fn tokens_from(bytes: Seq<u8>, at: int) -> Option<Seq<Token>>
    decreases bytes.len() - at,
{
    if at < 0 || at >= bytes.len() {
        Some(Seq::empty())
    } else if is_blank(bytes[at]) {
        tokens_from(bytes, at + 1)
    } else {
        match token_at(bytes, at) {
            Some((token, end)) => if at < end <= bytes.len() {
                match tokens_from(bytes, end) {
                    Some(rest) => Some(seq![token] + rest),
                    None => None,
                }
            } else {
                None
            },
            None => None,
        }
    }
}

/// The tokens of a line, given as bytes.
pub open spec fn tokens_of(bytes: Seq<u8>) -> Option<Seq<Token>> {
    tokens_from(bytes, 0)
}

/// The tokens of a line, given as text.
pub open spec fn lexed(source: Seq<char>) -> Option<Seq<Token>> {
    tokens_of(vstd::utf8::encode_utf8(source))
}

/// The run of digits from `start` goes on at `at`, if digits fill the gap.
proof fn lemma_digits_go_on(bytes: Seq<u8>, start: int, at: int)
    requires
        0 <= start <= at <= bytes.len(),
        forall|i: int| start <= i < at ==> is_digit(#[trigger] bytes[i]),
    ensures
        digits_end(bytes, start) == digits_end(bytes, at),
    decreases at - start,
{
    if start < at {
        lemma_digits_go_on(bytes, start + 1, at);
    }
}

/// The run of digits ends within the bytes, and not before it starts.
proof fn lemma_digits_end_bounds(bytes: Seq<u8>, start: int)
    requires
        0 <= start <= bytes.len(),
    ensures
        start <= digits_end(bytes, start) <= bytes.len(),
        forall|i: int| start <= i < digits_end(bytes, start) ==> is_digit(#[trigger] bytes[i]),
    decreases bytes.len() - start,
{
    if start < bytes.len() && is_digit(bytes[start]) {
        lemma_digits_end_bounds(bytes, start + 1);
    }
}

/// More digits never write a smaller number.
proof fn lemma_number_grows(bytes: Seq<u8>, start: int, middle: int, end: int)
    requires
        0 <= start <= middle <= end <= bytes.len(),
        forall|i: int| start <= i < end ==> is_digit(#[trigger] bytes[i]),
    ensures
        0 <= number(bytes, start, middle) <= number(bytes, start, end),
    decreases end - middle,
{
    lemma_number_nonnegative(bytes, start, middle);
    if middle < end {
        lemma_number_grows(bytes, start, middle, end - 1);
        assert(is_digit(bytes[end - 1]));
    }
}

/// Digits write no negative number.
proof fn lemma_number_nonnegative(bytes: Seq<u8>, start: int, end: int)
    requires
        0 <= start <= end <= bytes.len(),
        forall|i: int| start <= i < end ==> is_digit(#[trigger] bytes[i]),
    ensures
        0 <= number(bytes, start, end),
    decreases end - start,
{
    if start < end {
        lemma_number_nonnegative(bytes, start, end - 1);
        assert(is_digit(bytes[end - 1]));
    }
}

/// A token ends behind its start and within the bytes, and is made of ASCII bytes.
proof fn lemma_token_is_ascii(bytes: Seq<u8>, at: int)
    requires
        0 <= at < bytes.len(),
        token_at(bytes, at) is Some,
    ensures
        at < token_at(bytes, at)->Some_0.1 <= bytes.len(),
        forall|i: int| at <= i < token_at(bytes, at)->Some_0.1 ==> #[trigger] bytes[i] < 0x80,
{
    let byte = bytes[at];
    if byte == UPPER_T || byte == UPPER_L {
        lemma_digits_end_bounds(bytes, at + 1);
    } else if byte == UPPER_V {
        lemma_digits_end_bounds(bytes, at + 1);
        let end = digits_end(bytes, at + 1);
        if field_and_index_end(bytes, end) is Some {
            lemma_digits_end_bounds(bytes, end + 1);
            lemma_digits_end_bounds(bytes, digits_end(bytes, end + 1) + 1);
        }
    } else if is_digit(byte) {
        lemma_digits_end_bounds(bytes, at);
    }
}

/// Bytes with a byte outside ASCII in them cannot be split into tokens,
/// from no place up to that byte.
proof fn lemma_fails_before_byte_outside_ascii(bytes: Seq<u8>, start: int, at: int)
    requires
        0 <= start <= at < bytes.len(),
        bytes[at] >= 0x80,
    ensures
        tokens_from(bytes, start) is None,
    decreases at - start,
{
    if is_blank(bytes[start]) {
        lemma_fails_before_byte_outside_ascii(bytes, start + 1, at);
    } else if token_at(bytes, start) is Some {
        lemma_token_is_ascii(bytes, start);
        let end = token_at(bytes, start)->Some_0.1;
        if at < end {
            assert(bytes[at] < 0x80);
        }
        lemma_fails_before_byte_outside_ascii(bytes, end, at);
    }
}

/// Blanks are dropped: the tokens from a place on are the tokens from
/// behind the blanks that stand there.
pub proof fn lemma_blanks_are_dropped(bytes: Seq<u8>, at: int, end: int)
    requires
        0 <= at <= end <= bytes.len(),
        forall|i: int| at <= i < end ==> is_blank(#[trigger] bytes[i]),
    ensures
        tokens_from(bytes, at) == tokens_from(bytes, end),
    decreases end - at,
{
    if at < end {
        lemma_blanks_are_dropped(bytes, at + 1, end);
    }
}

/// A line of blanks, and an empty line, has no tokens.
pub proof fn lemma_blank_line_has_no_tokens(bytes: Seq<u8>)
    requires
        forall|i: int| 0 <= i < bytes.len() ==> is_blank(#[trigger] bytes[i]),
    ensures
        tokens_of(bytes) == Some(Seq::<Token>::empty()),
{
    lemma_blanks_are_dropped(bytes, 0, bytes.len() as int);
}

/// A token is read with the blanks behind it: the tokens from the place of
/// a token on are that token and the tokens from behind it.
pub proof fn lemma_token_then_rest(bytes: Seq<u8>, at: int)
    requires
        0 <= at < bytes.len(),
        !is_blank(bytes[at]),
        token_at(bytes, at) is Some,
    ensures
        tokens_from(bytes, at) == match tokens_from(bytes, token_at(bytes, at)->Some_0.1) {
            Some(rest) => Some(seq![token_at(bytes, at)->Some_0.0] + rest),
            None => None,
        },
{
    lemma_token_is_ascii(bytes, at);
}

/// A line with a byte outside ASCII in it, wherever it stands, cannot be split into tokens.
pub proof fn lemma_byte_outside_ascii_fails(bytes: Seq<u8>, at: int)
    requires
        0 <= at < bytes.len(),
        bytes[at] >= 0x80,
    ensures
        tokens_of(bytes) is None,
{
    lemma_fails_before_byte_outside_ascii(bytes, 0, at);
}

/// The first byte that writes a character outside ASCII is a byte outside ASCII.
proof fn lemma_first_byte_outside_ascii(scalar: u32)
    requires
        scalar >= 0x80,
    ensures
        vstd::utf8::encode_scalar(scalar).len() > 0,
        vstd::utf8::encode_scalar(scalar)[0] >= 0x80,
{
    let high = ((scalar >> 6) & 0x1F) as u8;
    let higher = ((scalar >> 12) & 0x0F) as u8;
    let highest = ((scalar >> 18) & 0x7) as u8;
    assert(0xC0u8 | high >= 0x80) by (bit_vector);
    assert(0xE0u8 | higher >= 0x80) by (bit_vector);
    assert(0xF0u8 | highest >= 0x80) by (bit_vector);
}

/// The bytes that write a text with a character outside ASCII in it hold a byte outside ASCII.
proof fn lemma_text_outside_ascii(source: Seq<char>, at: int) -> (place: int)
    requires
        0 <= at < source.len(),
        source[at] as u32 >= 0x80,
    ensures
        0 <= place < vstd::utf8::encode_utf8(source).len(),
        vstd::utf8::encode_utf8(source)[place] >= 0x80,
    decreases source.len(),
{
    let first = vstd::utf8::encode_scalar(source[0] as u32);
    if at == 0 {
        lemma_first_byte_outside_ascii(source[0] as u32);
        0
    } else {
        let place = lemma_text_outside_ascii(source.drop_first(), at - 1);
        first.len() + place
    }
}

/// A line with a character outside ASCII in it, wherever it stands, cannot be split into tokens.
pub proof fn lemma_character_outside_ascii_fails(source: Seq<char>, at: int)
    requires
        0 <= at < source.len(),
        source[at] as u32 >= 0x80,
    ensures
        lexed(source) is None,
{
    let place = lemma_text_outside_ascii(source, at);
    lemma_byte_outside_ascii_fails(vstd::utf8::encode_utf8(source), place);
}

/// Reads the number whose digits start at `start`.
fn read_number(source: &[u8], start: usize) -> (found: Option<(i64, usize)>)
    requires
        start <= source.len(),
    ensures
        match number_at(source@, start as int) {
            Some((value, end)) => found == Some((value, end as usize)) && start < end
                <= source.len(),
            None => found is None,
        },
{
    let mut value: i64 = 0;
    let mut at: usize = start;
    while at < source.len() && DIGIT_ZERO <= source[at] && source[at] <= DIGIT_NINE
        invariant
            start <= at <= source.len(),
            forall|i: int| start <= i < at ==> is_digit(#[trigger] source@[i]),
            value == number(source@, start as int, at as int),
            0 <= value,
        decreases source.len() - at,
    {
        let digit: i64 = (source[at] - DIGIT_ZERO) as i64;
        if value > (i64::MAX - digit) / 10 {
            proof {
                let end = digits_end(source@, start as int);
                lemma_digits_end_bounds(source@, start as int);
                lemma_digits_go_on(source@, start as int, at as int + 1);
                lemma_digits_end_bounds(source@, at as int + 1);
                lemma_number_grows(source@, start as int, at as int + 1, end);
            }
            return None;
        }
        value = value * 10 + digit;
        at += 1;
    }
    proof {
        lemma_digits_go_on(source@, start as int, at as int);
    }
    if at == start {
        None
    } else {
        Some((value, at))
    }
}

/// Finds where the run of digits that starts at `start` ends.
fn skip_digits(source: &[u8], start: usize) -> (end: usize)
    requires
        start <= source.len(),
    ensures
        end == digits_end(source@, start as int),
        start <= end <= source.len(),
{
    let mut at: usize = start;
    while at < source.len() && DIGIT_ZERO <= source[at] && source[at] <= DIGIT_NINE
        invariant
            start <= at <= source.len(),
            forall|i: int| start <= i < at ==> is_digit(#[trigger] source@[i]),
        decreases source.len() - at,
    {
        at += 1;
    }
    proof {
        lemma_digits_go_on(source@, start as int, at as int);
    }
    at
}

/// Reads over the field and the index of a memory location, if they stand at `at`.
fn read_field_and_index(source: &[u8], at: usize) -> (found: Option<usize>)
    requires
        at <= source.len(),
    ensures
        match field_and_index_end(source@, at as int) {
            Some(end) => found == Some(end as usize) && at < end <= source.len(),
            None => found is None,
        },
{
    if at >= source.len() || source[at] != DOT {
        return None;
    }
    let field_end = skip_digits(source, at + 1);
    if field_end == at + 1 || field_end >= source.len() || source[field_end]
        != LEFT_SQUARE_BRACKET {
        return None;
    }
    let index_end = skip_digits(source, field_end + 1);
    if index_end == field_end + 1 || index_end >= source.len() || source[index_end]
        != RIGHT_SQUARE_BRACKET {
        return None;
    }
    Some(index_end + 1)
}

/// Whether the two bytes `first`, `second` stand at `at`.
fn has_two_at(source: &[u8], at: usize, first: u8, second: u8) -> (found: bool)
    requires
        at <= source.len(),
    ensures
        found == two_at(source@, at as int, first, second),
{
    source.len() - at >= 2 && source[at] == first && source[at + 1] == second
}

/// Reads the token that starts at `at`.
fn read_token(source: &[u8], at: usize) -> (found: Option<(Token, usize)>)
    requires
        at < source.len(),
    ensures
        match token_at(source@, at as int) {
            Some((token, end)) => found == Some((token, end as usize)) && at < end
                <= source.len(),
            None => found is None,
        },
{
    let byte = source[at];
    if byte == PIPE {
        Some((Token::Pipe, at + 1))
    } else if byte == LEFT_PARENTHESIS {
        Some((Token::LeftParenthesis, at + 1))
    } else if byte == RIGHT_PARENTHESIS {
        Some((Token::RightParenthesis, at + 1))
    } else if byte == LEFT_SQUARE_BRACKET {
        Some((Token::LeftSquareBracket, at + 1))
    } else if byte == RIGHT_SQUARE_BRACKET {
        Some((Token::RightSquareBracket, at + 1))
    } else if byte == LOWER_W {
        Some((Token::Write, at + 1))
    } else if byte == LOWER_R {
        if has_two_at(source, at + 1, LOWER_E, LOWER_L) {
            Some((Token::Release, at + 3))
        } else if has_two_at(source, at + 1, LOWER_E, LOWER_Q) {
            Some((Token::Request, at + 3))
        } else {
            Some((Token::Read, at + 1))
        }
    } else if byte == LOWER_A {
        if has_two_at(source, at + 1, LOWER_C, LOWER_Q) {
            Some((Token::Acquire, at + 3))
        } else {
            None
        }
    } else if byte == LOWER_F {
        if has_two_at(source, at + 1, LOWER_O, LOWER_R) && at + 3 < source.len() && source[at + 3]
            == LOWER_K {
            Some((Token::Fork, at + 4))
        } else {
            None
        }
    } else if byte == LOWER_J {
        if has_two_at(source, at + 1, LOWER_O, LOWER_I) && at + 3 < source.len() && source[at + 3]
            == LOWER_N {
            Some((Token::Join, at + 4))
        } else {
            None
        }
    } else if byte == UPPER_T {
        match read_number(source, at + 1) {
            Some((id, end)) => Some((Token::ThreadIdentifier(id), end)),
            None => None,
        }
    } else if byte == UPPER_L {
        match read_number(source, at + 1) {
            Some((id, end)) => Some((Token::LockIdentifier(id), end)),
            None => None,
        }
    } else if byte == UPPER_V {
        match read_number(source, at + 1) {
            Some((id, end)) => match read_field_and_index(source, end) {
                Some(longer) => Some((Token::MemoryLocation(id), longer)),
                None => Some((Token::MemoryLocation(id), end)),
            },
            None => None,
        }
    } else if DIGIT_ZERO <= byte && byte <= DIGIT_NINE {
        match read_number(source, at) {
            Some((value, end)) => Some((Token::LineNumber(value), end)),
            None => None,
        }
    } else {
        None
    }
}

/// Splits the bytes of a line into tokens.
pub fn lex(source: &[u8]) -> (tokens: Result<Vec<Token>, LexerError>)
    ensures
        match tokens_of(source@) {
            Some(expected) => tokens matches Ok(found) && found@ == expected,
            None => tokens == Err::<Vec<Token>, LexerError>(LexerError::NonAsciiCharacter),
        },
{
    let mut tokens: Vec<Token> = Vec::new();
    let mut at: usize = 0;
    while at < source.len()
        invariant
            at <= source.len(),
            tokens_of(source@) == match tokens_from(source@, at as int) {
                Some(rest) => Some(tokens@ + rest),
                None => None,
            },
        decreases source.len() - at,
    {
        let byte = source[at];
        if byte == 0x20 || byte == 0x09 || byte == 0x0a || byte == 0x0c || byte == 0x0d {
            at += 1;
        } else {
            match read_token(source, at) {
                Some((token, end)) => {
                    proof {
                        let rest = tokens_from(source@, end as int);
                        if rest is Some {
                            assert(tokens@ + (seq![token] + rest.unwrap()) =~= tokens@.push(token)
                                + rest.unwrap());
                        }
                    }
                    tokens.push(token);
                    at = end;
                },
                None => {
                    return Err(LexerError::NonAsciiCharacter);
                },
            }
        }
    }
    assert(tokens@ + Seq::<Token>::empty() =~= tokens@);
    Ok(tokens)
}

/// Splits a line of a textual trace into its tokens. With `normalize`, the
/// bare number that follows an operation and its parenthesis is given the
/// kind that the operation works on.
pub fn tokenize_source(source: String, normalize: bool) -> (tokens: Result<
    Vec<Token>,
    AnalyzerError,
>)
    ensures
        match lexed(source@) {
            Some(expected) => tokens matches Ok(found) && found@ == if normalize {
                normalized(expected)
            } else {
                expected
            },
            None => tokens == Err::<Vec<Token>, AnalyzerError>(
                AnalyzerError::LexerError(LexerError::NonAsciiCharacter),
            ),
        },
{
    match lex(source.as_str().as_bytes()) {
        Ok(tokens) => if normalize {
            Ok(normalize_tokens(tokens))
        } else {
            Ok(tokens)
        },
        Err(error) => Err(AnalyzerError::LexerError(error)),
    }
}

} // verus!
